//! What holds of the library as a whole.
use crate::analysis;
use crate::completion;
use crate::config;
use crate::diagnostics;
use crate::dictionary;
use crate::dictionary::EntryKind;
use crate::edit;
use crate::index;
use crate::json;
use crate::key;
use crate::lookup;
use crate::navigation;
use crate::path;
use crate::path::Platform;
use crate::position;
use crate::search;
use crate::sort;
use crate::source;
use crate::source::OccurrenceKind;
use crate::status;
use crate::syntax;
use crate::text;
use crate::urls;
use crate::workspace;
use crate::workspace::WorkspacePreferences;
use vstd::prelude::*;

pub mod adding;
pub mod answers;
pub mod calls;
pub mod cursor;
pub mod details;
pub mod dictionaries;
pub mod documents;
pub mod files;
pub mod folders;
pub mod keys;
pub mod listing;
pub mod literals;
pub mod matching;
pub mod members;
pub mod patterns;
pub mod positions;
pub mod references;
pub mod scoping;
pub mod telling;
pub mod translators;
pub mod tree;
pub mod usage;
pub mod writing;

verus! {

/// What stands under a scope is found again relative to it.
pub proof fn joining_and_back(scope: Seq<char>, relative: Seq<char>, separator: Seq<char>)
    ensures
        key::joined_key(scope, relative, separator) matches Some(key) ==> key::relative_key(
            key,
            scope,
            separator,
        ) == Some(relative),
{
    let key = scope + separator + relative;
    assert(key.subrange(0, 0 + scope.len() as int) =~= scope);
    assert(key.subrange(scope.len() as int, (scope.len() + separator.len()) as int) =~= separator);
    assert(key.skip((scope.len() + separator.len()) as int) =~= relative);
}

/// What follows a scope and a separator is what stands relative to the scope, and all of it lies
/// below the scope.
pub proof fn what_follows_a_scope_is_relative(
    scope: Seq<char>,
    relative: Seq<char>,
    separator: Seq<char>,
)
    ensures
        key::relative_key(scope + separator + relative, scope, separator) == Some(relative),
        key::is_below(scope + separator + relative, scope, separator),
{
    let key = scope + separator + relative;
    let cut = (scope.len() + separator.len()) as int;
    assert(key.subrange(0, 0 + scope.len() as int) =~= scope);
    assert(key.subrange(0, 0 + cut) =~= scope + separator);
    assert(key.subrange(scope.len() as int, cut) =~= separator);
    assert(key.skip(cut) =~= relative);
}

/// What stands under a scope relative to it gives the key again.
pub proof fn relative_and_back(key: Seq<char>, scope: Seq<char>, separator: Seq<char>)
    requires
        key::is_key(key, separator),
    ensures
        key::relative_key(key, scope, separator) matches Some(relative) ==> key::joined_key(
            scope,
            relative,
            separator,
        ) == Some(key),
{
    if let Some(relative) = key::relative_key(key, scope, separator) {
        let cut = (scope.len() + separator.len()) as int;
        assert(key.subrange(0, 0 + scope.len() as int) + key.subrange(scope.len() as int, cut)
            + key.skip(cut) =~= key);
    }
}

/// A key lies below a scope if and only if there is something of it relative to that.
pub proof fn below_is_relative(key: Seq<char>, scope: Seq<char>, separator: Seq<char>)
    ensures
        key::is_below(key, scope, separator) == (key::relative_key(key, scope, separator) is Some),
{
    let both = scope + separator;
    let cut = both.len() as int;
    if key::is_below(key, scope, separator) {
        assert(key.subrange(0, 0 + scope.len() as int) =~= key.subrange(0, cut).subrange(
            0,
            scope.len() as int,
        ));
        assert(both.subrange(0, scope.len() as int) =~= scope);
        assert(key.subrange(scope.len() as int, cut) =~= key.subrange(0, cut).subrange(
            scope.len() as int,
            cut,
        ));
        assert(both.subrange(scope.len() as int, cut) =~= separator);
    }
    if key::relative_key(key, scope, separator) is Some {
        assert(key.subrange(0, 0 + scope.len() as int) + key.subrange(scope.len() as int, cut)
            =~= key.subrange(0, cut));
    }
}

/// A key lies below its parent, and what it is relative to that is one segment.
pub proof fn parent_is_next(key: Seq<char>, separator: Seq<char>)
    ensures
        key::parent_of(key, separator) matches Some(parent) ==> key::is_key(parent, separator) && (
        key::relative_key(key, parent, separator) matches Some(relative) && !search::contains(
            relative,
            separator,
        )),
{
    search::lemma_rfind(key, separator, key.len() as int);
    if let Some(parent) = key::parent_of(key, separator) {
        let i = search::rfind_from(key, separator, key.len() as int)->0;
        assert(key.subrange(0, 0 + parent.len() as int) =~= parent);
        let cut = i + separator.len();
        let relative = key.skip(cut);
        assert(key::relative_key(key, parent, separator) == Some(relative));
        search::lemma_find(relative, separator, 0);
        if let Some(j) = search::find_from(relative, separator, 0) {
            assert(key.subrange(cut + j, cut + j + separator.len()) =~= relative.subrange(
                j,
                j + separator.len(),
            ));
            assert(search::occurs_at(key, separator, cut + j));
        }
    }
}

proof fn lemma_segments_joined(chars: Seq<char>, separator: Seq<char>, from: int)
    requires
        separator.len() > 0,
        0 <= from <= chars.len(),
    ensures
        search::segments_from(chars, separator, from).len() > 0,
        search::joined(search::segments_from(chars, separator, from), separator) == chars.skip(
            from,
        ),
    decreases chars.len() - from,
{
    search::lemma_find(chars, separator, from);
    let parts = search::segments_from(chars, separator, from);
    match search::find_from(chars, separator, from) {
        None => {
            assert(search::joined(parts, separator) =~= chars.skip(from));
        },
        Some(i) => {
            let next = i + separator.len();
            lemma_segments_joined(chars, separator, next);
            let rest = search::segments_from(chars, separator, next);
            assert(parts =~= seq![chars.subrange(from, i)] + rest);
            lemma_joined_front(chars.subrange(from, i), rest, separator);
            assert(chars.subrange(from, i) + separator + chars.skip(next) =~= chars.skip(from));
        },
    }
}

proof fn lemma_joined_front(first: Seq<char>, rest: Seq<Seq<char>>, separator: Seq<char>)
    requires
        rest.len() > 0,
    ensures
        search::joined(seq![first] + rest, separator) == first + separator + search::joined(
            rest,
            separator,
        ),
    decreases rest.len(),
{
    let all = seq![first] + rest;
    assert(all.drop_last() =~= seq![first] + rest.drop_last());
    assert(all.last() == rest.last());
    if rest.len() > 1 {
        lemma_joined_front(first, rest.drop_last(), separator);
        assert(search::joined(all, separator) =~= first + separator + search::joined(
            rest,
            separator,
        ));
    } else {
        assert(rest.drop_last() =~= Seq::<Seq<char>>::empty());
        assert(all.drop_last() =~= seq![first]);
        assert(search::joined(seq![first], separator) =~= first);
        assert(search::joined(all, separator) =~= first + separator + search::joined(
            rest,
            separator,
        ));
    }
}

/// The segments of a text with the separator between them are the text.
pub proof fn segments_make_the_text(chars: Seq<char>, separator: Seq<char>)
    requires
        separator.len() > 0,
    ensures
        search::joined(search::segments(chars, separator), separator) == chars,
{
    lemma_segments_joined(chars, separator, 0);
    assert(chars.skip(0) =~= chars);
}

proof fn lemma_cuts(key: Seq<char>, separator: Seq<char>, from: int)
    requires
        0 <= from,
    ensures
        forall|n: int|
            0 <= n < key::cuts_from(key, separator, from).len() ==> search::occurs_at(
                key,
                separator,
                #[trigger] key::cuts_from(key, separator, from)[n],
            ) && from <= key::cuts_from(key, separator, from)[n],
    decreases key.len() + 1 - from,
{
    search::lemma_find(key, separator, from);
    if let Some(i) = search::find_from(key, separator, from) {
        let next = if separator.len() == 0 {
            i + 1
        } else {
            i + separator.len() as int
        };
        if i <= key.len() {
            lemma_cuts(key, separator, next);
            let cuts = key::cuts_from(key, separator, from);
            let rest = key::cuts_from(key, separator, next);
            assert forall|n: int| 0 <= n < cuts.len() implies search::occurs_at(
                key,
                separator,
                #[trigger] cuts[n],
            ) && from <= cuts[n] by {
                if n > 0 {
                    assert(cuts[n] == rest[n - 1]);
                }
            }
        }
    }
}

/// A key is ignored only where it is one of the ignored scopes or lies below one of them.
pub proof fn ignoring_is_exact(scopes: Seq<Seq<char>>, key: Seq<char>, separator: Seq<char>)
    requires
        key::ignored(scopes, key, separator),
    ensures
        exists|scope: Seq<char>|
            #[trigger] scopes.contains(scope) && (key == scope || key::is_below(
                key,
                scope,
                separator,
            )),
{
    if !scopes.contains(key) {
        let cuts = key::cuts_from(key, separator, 0);
        let n = choose|n: int|
            0 <= n < cuts.len() && scopes.contains(key.take(#[trigger] cuts[n]));
        lemma_cuts(key, separator, 0);
        let i = cuts[n];
        let scope = key.take(i);
        assert(key.subrange(0, 0 + (scope + separator).len() as int) =~= scope + key.subrange(
            i,
            i + separator.len(),
        ));
        assert(key::is_below(key, scope, separator));
    }
}

proof fn lemma_cuts_kept(key: Seq<char>, below: Seq<char>, separator: Seq<char>, from: int)
    requires
        0 <= from,
        key.len() <= below.len(),
        below.take(key.len() as int) == key,
        key::cuts_from(below, separator, from).contains(key.len() as int),
    ensures
        forall|n: int|
            0 <= n < key::cuts_from(key, separator, from).len() ==> key::cuts_from(
                below,
                separator,
                from,
            ).contains(#[trigger] key::cuts_from(key, separator, from)[n]),
    decreases key.len() + 1 - from,
{
    let m = key.len() as int;
    let few = key::cuts_from(key, separator, from);
    let many = key::cuts_from(below, separator, from);
    search::lemma_find(key, separator, from);
    search::lemma_find(below, separator, from);
    lemma_cuts(below, separator, from);
    if let Some(i) = search::find_from(key, separator, from) {
        assert(search::occurs_at(below, separator, i)) by {
            assert(below.subrange(i, i + separator.len()) =~= key.subrange(i, i + separator.len()));
        }
        let d = search::find_from(below, separator, from)->0;
        assert(d == i) by {
            if d < i {
                assert(key.subrange(d, d + separator.len()) =~= below.subrange(
                    d,
                    d + separator.len(),
                ));
                assert(search::occurs_at(key, separator, d));
            }
        }
        let next = if separator.len() == 0 {
            i + 1
        } else {
            i + separator.len() as int
        };
        let rest_few = key::cuts_from(key, separator, next);
        let rest_many = key::cuts_from(below, separator, next);
        assert(few =~= seq![i] + rest_few);
        assert(many =~= seq![i] + rest_many);
        assert(many[0] == i);
        if i == m {
            assert(rest_few.len() == 0);
        } else {
            let k = choose|k: int| 0 <= k < many.len() && many[k] == m;
            assert(k > 0);
            assert(rest_many[k - 1] == m);
            lemma_cuts_kept(key, below, separator, next);
        }
        assert forall|n: int| 0 <= n < few.len() implies many.contains(#[trigger] few[n]) by {
            if n > 0 {
                assert(few[n] == rest_few[n - 1]);
                assert(rest_many.contains(rest_few[n - 1]));
                let k = choose|k: int| 0 <= k < rest_many.len() && rest_many[k] == few[n];
                assert(many[k + 1] == few[n]);
            }
        }
    }
}

/// What continues an ignored key by segments, so that one of its separators stands right behind
/// the key, is ignored too.
pub proof fn ignoring_descends(
    scopes: Seq<Seq<char>>,
    key: Seq<char>,
    below: Seq<char>,
    separator: Seq<char>,
)
    requires
        key::ignored(scopes, key, separator),
        key.len() <= below.len(),
        below.take(key.len() as int) == key,
        key::cuts_from(below, separator, 0).contains(key.len() as int),
    ensures
        key::ignored(scopes, below, separator),
{
    let cuts = key::cuts_from(below, separator, 0);
    if scopes.contains(key) {
        let k = choose|k: int| 0 <= k < cuts.len() && cuts[k] == key.len() as int;
        assert(scopes.contains(below.take(cuts[k])));
    } else {
        let few = key::cuts_from(key, separator, 0);
        let n = choose|n: int| 0 <= n < few.len() && scopes.contains(key.take(#[trigger] few[n]));
        lemma_cuts_kept(key, below, separator, 0);
        lemma_cuts(key, separator, 0);
        assert(cuts.contains(few[n]));
        let k = choose|k: int| 0 <= k < cuts.len() && cuts[k] == few[n];
        assert(below.take(cuts[k]) =~= key.take(few[n]));
        assert(scopes.contains(below.take(cuts[k])));
    }
}

/// Whether no occurrence of a text can overlap another: it does not end as it begins.
pub open spec fn is_unbordered(text: Seq<char>) -> bool {
    forall|k: int| 0 < k < text.len() ==> #[trigger] text.take(k) != text.skip(text.len() - k)
}

proof fn lemma_unbordered_cut(key: Seq<char>, separator: Seq<char>, m: int, from: int)
    requires
        0 <= from <= m,
        separator.len() > 0,
        is_unbordered(separator),
        search::occurs_at(key, separator, m),
    ensures
        key::cuts_from(key, separator, from).contains(m),
    decreases key.len() + 1 - from,
{
    search::lemma_find(key, separator, from);
    let d = search::find_from(key, separator, from)->0;
    let width = separator.len() as int;
    let cuts = key::cuts_from(key, separator, from);
    let rest = key::cuts_from(key, separator, d + width);
    assert(cuts =~= seq![d] + rest);
    if d == m {
        assert(cuts[0] == m);
    } else {
        if m < d + width {
            let k = d + width - m;
            assert(separator.take(k) =~= key.subrange(m, m + width).take(k));
            assert(separator.skip(width - k) =~= key.subrange(d, d + width).skip(width - k));
            assert(key.subrange(m, m + width).take(k) =~= key.subrange(d, d + width).skip(
                width - k,
            ));
            assert(separator.take(k) == separator.skip(separator.len() - k));
            assert(false);
        }
        lemma_unbordered_cut(key, separator, m, d + width);
        let k = choose|k: int| 0 <= k < rest.len() && rest[k] == m;
        assert(cuts[k + 1] == m);
    }
}

/// What lies below an ignored key is ignored too, where no separator can overlap another.
pub proof fn ignoring_covers_what_lies_below(
    scopes: Seq<Seq<char>>,
    key: Seq<char>,
    below: Seq<char>,
    separator: Seq<char>,
)
    requires
        separator.len() > 0,
        is_unbordered(separator),
        key::ignored(scopes, key, separator),
        key::is_below(below, key, separator),
    ensures
        key::ignored(scopes, below, separator),
{
    let m = key.len() as int;
    let both = key + separator;
    let cut = both.len() as int;
    assert(below.take(m) =~= below.subrange(0, 0 + cut).take(m));
    assert(both.take(m) =~= key);
    assert(below.subrange(m, m + separator.len()) =~= below.subrange(0, 0 + cut).skip(m));
    assert(both.skip(m) =~= separator);
    lemma_unbordered_cut(below, separator, m, 0);
    ignoring_descends(scopes, key, below, separator);
}

proof fn lemma_place(files: Seq<index::FileView>, uri: Seq<char>, from: int)
    requires
        0 <= from,
    ensures
        match index::place_of(files, uri, from) {
            Some(i) => from <= i < files.len() && files[i].uri == uri && forall|j: int|
                from <= j < i ==> (#[trigger] files[j]).uri != uri,
            None => forall|j: int| from <= j < files.len() ==> (#[trigger] files[j]).uri != uri,
        },
    decreases files.len() - from,
{
    if from < files.len() && files[from].uri != uri {
        lemma_place(files, uri, from + 1);
    }
}

proof fn lemma_with_file(files: Seq<index::FileView>, file: index::FileView)
    requires
        index::are_distinct(files),
    ensures
        index::are_distinct(index::with_file(files, file)),
{
    lemma_place(files, file.uri, 0);
}

/// No two files of an index have the same URI.
pub proof fn files_are_distinct(files: Seq<index::FileView>, n: int)
    ensures
        index::are_distinct(index::distinct_files(files, n)),
    decreases n,
{
    if n > 0 {
        files_are_distinct(files, n - 1);
        lemma_with_file(index::distinct_files(files, n - 1), files[n - 1]);
    }
}

proof fn lemma_distinct_already(files: Seq<index::FileView>, n: int)
    requires
        index::are_distinct(files),
        0 <= n <= files.len(),
    ensures
        index::distinct_files(files, n) == files.take(n),
    decreases n,
{
    if n > 0 {
        lemma_distinct_already(files, n - 1);
        lemma_place(files.take(n - 1), files[n - 1].uri, 0);
        assert(files.take(n - 1).push(files[n - 1]) =~= files.take(n));
    }
}

proof fn lemma_with_files(held: workspace::WorkspaceView, files: Seq<index::FileView>)
    requires
        index::are_distinct(files),
    ensures
        held.with_files(files).snapshot.files == files,
{
    lemma_distinct_already(files, files.len() as int);
    assert(files.take(files.len() as int) =~= files);
}

proof fn lemma_key_place(keys: Seq<Seq<char>>, key: Seq<char>, from: int)
    requires
        0 <= from,
    ensures
        match index::key_place(keys, key, from) {
            Some(i) => from <= i < keys.len() && keys[i] == key,
            None => forall|i: int| from <= i < keys.len() ==> keys[i] != key,
        },
    decreases keys.len() - from,
{
    if from < keys.len() && keys[from] != key {
        lemma_key_place(keys, key, from + 1);
    }
}

proof fn lemma_disk_keys(held: workspace::WorkspaceView, files: Seq<workspace::DiskView>, n: int)
    ensures
        index::disk_keys(held.disk_contributions(files, n), held.platform).no_duplicates(),
    decreases n,
{
    if n > 0 {
        lemma_disk_keys(held, files, n - 1);
        let before = held.disk_contributions(files, n - 1);
        if let Some(file) = held.disk_contribution(files[n - 1]) {
            let keys = index::disk_keys(before, held.platform);
            let key = urls::disk_key(file.uri, held.platform);
            let after = index::with_disk_file(before, file, held.platform);
            lemma_key_place(keys, key, 0);
            match index::key_place(keys, key, 0) {
                Some(_) => {
                    assert(index::disk_keys(after, held.platform) =~= keys);
                },
                None => {
                    assert(index::disk_keys(after, held.platform) =~= keys.push(key));
                },
            }
        }
    }
}

/// A scan keeps each file on disk once, also where the case of letters does not tell files apart.
pub proof fn scanned_files_are_distinct(
    held: workspace::WorkspaceView,
    files: Seq<workspace::DiskView>,
    n: int,
)
    ensures
        index::disk_keys(
            held.with_files(held.disk_contributions(files, n)).snapshot.files,
            held.platform,
        ).no_duplicates(),
{
    lemma_disk_keys(held, files, n);
    let found = held.disk_contributions(files, n);
    let keys = index::disk_keys(found, held.platform);
    assert forall|i: int, j: int| 0 <= i < j < found.len() implies found[i].uri != found[j].uri by {
        assert(keys[i] != keys[j]);
    }
    lemma_with_files(held, found);
}

/// The file that was put into files is there, and all others are as before.
proof fn lemma_found(files: Seq<index::FileView>, file: index::FileView, uri: Seq<char>)
    requires
        index::are_distinct(files),
    ensures
        ({
            let before = index::SnapshotView { generation: 0, files };
            let after = index::SnapshotView {
                generation: 0,
                files: index::with_file(files, file),
            };
            after.file(uri) == if uri == file.uri {
                Some(file)
            } else {
                before.file(uri)
            }
        }),
{
    let after = index::with_file(files, file);
    lemma_place(files, file.uri, 0);
    lemma_place(files, uri, 0);
    lemma_place(after, uri, 0);
    lemma_with_file(files, file);
    match index::place_of(files, file.uri, 0) {
        Some(i) => {
            if uri == file.uri {
                assert(after[i].uri == uri);
            }
        },
        None => {
            assert(after[files.len() as int] == file);
        },
    }
    if uri != file.uri {
        match index::place_of(files, uri, 0) {
            Some(k) => {
                assert(after[k] == files[k]);
            },
            None => {
                if let Some(k) = index::place_of(after, uri, 0) {
                    if k < files.len() {
                        assert(after[k] == files[k]);
                    }
                }
            },
        }
    }
}

/// The file that was taken out of files is gone, and all others are as before.
proof fn lemma_lost(files: Seq<index::FileView>, gone: Seq<char>, uri: Seq<char>)
    requires
        index::are_distinct(files),
    ensures
        index::are_distinct(index::without_file(files, gone)),
        ({
            let before = index::SnapshotView { generation: 0, files };
            let after = index::SnapshotView {
                generation: 0,
                files: index::without_file(files, gone),
            };
            after.file(uri) == if uri == gone {
                None
            } else {
                before.file(uri)
            }
        }),
{
    let after = index::without_file(files, gone);
    lemma_place(files, gone, 0);
    lemma_place(files, uri, 0);
    lemma_place(after, uri, 0);
    if let Some(i) = index::place_of(files, gone, 0) {
        assert forall|k: int| 0 <= k < after.len() implies #[trigger] after[k] == files[if k < i {
            k
        } else {
            k + 1
        }] by {}
        if let Some(k) = index::place_of(files, uri, 0) {
            if uri != gone {
                assert(after[if k < i {
                    k
                } else {
                    k - 1
                }] == files[k]);
            }
        }
    }
}

/// A text that is older than what is held changes nothing.
pub proof fn stale_text_changes_nothing(
    held: workspace::WorkspaceView,
    uri: Seq<char>,
    path: Option<Seq<char>>,
    canonical: Seq<char>,
    text: Seq<char>,
    version: Option<i32>,
)
    requires
        held.snapshot.file(uri) matches Some(file) && file.version matches Some(known)
            && version matches Some(version) && version <= known,
    ensures
        held.updated(uri, path, canonical, text, version) == held,
{
}

/// A text that is not stale is held with its version, whether it can be parsed or not; nothing else
/// changes but the generation, which is the next one.
pub proof fn accepted_text_is_held(
    held: workspace::WorkspaceView,
    uri: Seq<char>,
    path: Option<Seq<char>>,
    canonical: Seq<char>,
    text: Seq<char>,
    version: Option<i32>,
    other: Seq<char>,
)
    requires
        index::are_distinct(held.snapshot.files),
        held.snapshot.generation < u64::MAX,
        !held.is_stale(uri, version),
    ensures
        ({
            let kept = if held.snapshot.file(uri) is Some {
                uri
            } else {
                canonical
            };
            let after = held.updated(uri, path, canonical, text, version);
            &&& after.snapshot.file(kept) matches Some(file) && file.text == text && file.version
                == version
            &&& other != kept ==> after.snapshot.file(other) == held.snapshot.file(other)
            &&& after.snapshot.generation == held.snapshot.generation + 1
            &&& index::are_distinct(after.snapshot.files)
            &&& after.root == held.root && after.config == held.config && after.preferences
                == held.preferences
        }),
{
    lemma_place(held.snapshot.files, uri, 0);
    let kept = match held.snapshot.file(uri) {
        Some(file) => file.uri,
        None => canonical,
    };
    let parsed = match path {
        Some(path) => held.contribution(kept, path, text, version),
        None => None,
    };
    let file = match parsed {
        Some(file) => file,
        None => index::FileView {
            uri: kept,
            text,
            version,
            dictionaries: Seq::empty(),
            occurrences: Seq::empty(),
            ignored_occurrences: Seq::empty(),
            bindings: Seq::empty(),
        },
    };
    let files = index::with_file(held.snapshot.files, file);
    lemma_with_file(held.snapshot.files, file);
    lemma_with_files(held, files);
    lemma_found(held.snapshot.files, file, kept);
    lemma_found(held.snapshot.files, file, other);
}

/// What is read from disk takes the place of what an editor gave, and has no version, so that no
/// text that an editor gives then is stale.
pub proof fn disk_text_resets_the_version(
    held: workspace::WorkspaceView,
    uri: Seq<char>,
    file: workspace::DiskView,
    version: Option<i32>,
)
    requires
        index::are_distinct(held.snapshot.files),
        held.disk_contribution(file) is Some,
    ensures
        ({
            let found = held.disk_contribution(file)->0;
            let after = held.refreshed(uri, file);
            &&& Ok::<Seq<char>, Seq<char>>(found.text) == file.text
            &&& Some(found.uri) == file.uri
            &&& after.snapshot.file(found.uri) == Some(found)
            &&& uri != found.uri ==> after.snapshot.file(uri) is None
            &&& !after.is_stale(found.uri, version)
        }),
{
    let found = held.disk_contribution(file)->0;
    let files = held.snapshot.files;
    lemma_lost(files, uri, found.uri);
    lemma_lost(files, uri, uri);
    let rest = if found.uri == uri {
        files
    } else {
        index::without_file(files, uri)
    };
    lemma_with_file(rest, found);
    lemma_with_files(held, index::with_file(rest, found));
    lemma_found(rest, found, found.uri);
    lemma_found(rest, found, uri);
}

/// A file that is not on disk any more, or is nothing to index, leaves the index.
pub proof fn missing_file_leaves(
    held: workspace::WorkspaceView,
    uri: Seq<char>,
    file: workspace::DiskView,
)
    requires
        index::are_distinct(held.snapshot.files),
        held.disk_contribution(file) is None,
    ensures
        held.refreshed(uri, file).snapshot.file(uri) is None,
{
    lemma_lost(held.snapshot.files, uri, uri);
    lemma_with_files(held, index::without_file(held.snapshot.files, uri));
}

proof fn lemma_kept_holds<V>(items: Seq<V>, keep: spec_fn(V) -> bool)
    ensures
        forall|i: int| 0 <= i < sort::kept(items, keep).len() ==> keep(
            #[trigger] sort::kept(items, keep)[i],
        ),
    decreases items.len(),
{
    if items.len() > 0 {
        lemma_kept_holds(items.drop_last(), keep);
        let front = sort::kept(items.drop_last(), keep);
        assert forall|i: int| 0 <= i < sort::kept(items, keep).len() implies keep(
            #[trigger] sort::kept(items, keep)[i],
        ) by {
            if i < front.len() {
                assert(keep(front[i]));
            }
        }
    }
}

/// No key of an ignored scope enters the index, neither from a dictionary nor from source code; of
/// the occurrences that are kept for a warning each has such a key.
pub proof fn ignored_keys_stay_out(
    held: workspace::WorkspaceView,
    uri: Seq<char>,
    path: Seq<char>,
    text: Seq<char>,
    version: Option<i32>,
)
    ensures
        held.contribution(uri, path, text, version) matches Some(file) ==> {
            &&& forall|i: int|
                0 <= i < file.dictionaries.len() ==> !held.ignores(
                    (#[trigger] file.dictionaries[i]).key,
                )
            &&& forall|i: int|
                0 <= i < file.occurrences.len() ==> !held.ignores(
                    (#[trigger] file.occurrences[i]).key,
                )
            &&& forall|i: int|
                0 <= i < file.ignored_occurrences.len() ==> held.ignores(
                    (#[trigger] file.ignored_occurrences[i]).key,
                )
        },
{
    let scopes = text::distinct(
        held.config.ignored_scopes,
        held.config.ignored_scopes.len() as int,
    );
    let separator = held.config.key_separator;
    if let Some(file) = held.contribution(uri, path, text, version) {
        match held.identity(path) {
            Some(identity) => {
                let all = dictionary::entries_of(
                    uri,
                    identity.locale,
                    text,
                    separator,
                    syntax::json_tree(text),
                );
                let keep = |entry: dictionary::EntryView|
                    !key::ignored(scopes, entry.key, separator);
                lemma_kept_holds(all, keep);
                let rest = dictionary::without_ignored(all, scopes, separator);
                assert(rest == sort::kept(all, keep));
                assert forall|i: int| 0 <= i < file.dictionaries.len() implies !held.ignores(
                    (#[trigger] file.dictionaries[i]).key,
                ) by {
                    assert(keep(rest[i]));
                }
            },
            None => {
                let found = analysis::occurrences_in(
                    held.source_file(uri, text),
                    syntax::tsx_tree(text),
                );
                let keep = |occurrence: source::OccurrenceView|
                    !key::ignored(scopes, occurrence.key, separator);
                let drop = |occurrence: source::OccurrenceView|
                    key::ignored(scopes, occurrence.key, separator) && workspace::is_notable(
                        occurrence,
                        scopes,
                        separator,
                    );
                lemma_kept_holds(found, keep);
                lemma_kept_holds(found, drop);
                assert(file.occurrences == sort::kept(found, keep));
                assert(file.ignored_occurrences == sort::kept(found, drop));
                assert forall|i: int| 0 <= i < file.occurrences.len() implies !held.ignores(
                    (#[trigger] file.occurrences[i]).key,
                ) by {
                    assert(keep(file.occurrences[i]));
                }
                assert forall|i: int| 0 <= i < file.ignored_occurrences.len() implies held.ignores(
                    (#[trigger] file.ignored_occurrences[i]).key,
                ) by {
                    assert(drop(file.ignored_occurrences[i]));
                }
            },
        }
    }
}

/// A workspace is loaded only with a pattern that names the locale once, with dictionaries that can
/// be read, and with one of the default locale.
pub proof fn loading_needs_the_default_locale(
    platform: Platform,
    root: Seq<char>,
    config: config::ConfigView,
    preferences: WorkspacePreferences,
    files: Seq<workspace::DiskView>,
    walk: Seq<workspace::WalkedView>,
)
    requires
        workspace::load_fault(platform, root, config, preferences, files, walk) is None,
    ensures
        search::count(config.dictionaries, "{locale}"@) == 1,
        config.key_separator.len() > 0,
        ({
            let fresh = workspace::fresh_workspace(platform, root, config, preferences);
            &&& fresh.first_issue(walk, 0) is None
            &&& exists|i: int|
                0 <= i < files.len() && fresh.disk_contribution(#[trigger] files[i]) is Some && (
                fresh.identity(files[i].path) matches Some(identity) && identity.locale
                    == config.default_locale)
        }),
{
}

/// A dynamic scope uses every key below it, and itself.
pub proof fn dynamic_scope_uses_what_lies_below(
    occurrences: Seq<source::OccurrenceView>,
    i: int,
    key: Seq<char>,
    separator: Seq<char>,
)
    requires
        0 <= i < occurrences.len(),
        occurrences[i].kind == OccurrenceKind::DynamicScope,
        key == occurrences[i].key || key::is_below(key, occurrences[i].key, separator),
    ensures
        index::is_used(occurrences, key, separator),
{
    assert(index::uses(occurrences[i], key, separator));
}

/// To declare a scope is to use no key: a key is used only where an occurrence names it in another
/// way or makes a scope of it dynamic.
pub proof fn declaring_is_not_using(
    occurrences: Seq<source::OccurrenceView>,
    key: Seq<char>,
    separator: Seq<char>,
)
    requires
        forall|i: int|
            0 <= i < occurrences.len() ==> (#[trigger] occurrences[i]).kind
                == OccurrenceKind::ScopeDeclaration,
    ensures
        !index::is_used(occurrences, key, separator),
{
}

/// The translator that a call uses is visible where the call stands, and is called by its name.
pub proof fn translators_are_visible(
    bindings: Seq<source::BindingView>,
    n: int,
    callee: Seq<char>,
    at: usize,
)
    requires
        0 <= n <= bindings.len(),
    ensures
        analysis::resolved(bindings, n, callee, at) matches Some(binding) ==> bindings.contains(
            binding,
        ) && binding.visibility.0 <= at <= binding.visibility.1 && analysis::binds(
            binding,
            callee,
            at,
        ),
        analysis::resolved(bindings, n, callee, at) is None ==> forall|i: int|
            0 <= i < n ==> !analysis::binds(#[trigger] bindings[i], callee, at),
    decreases n,
{
    if n > 0 && !analysis::binds(bindings[n - 1], callee, at) {
        translators_are_visible(bindings, n - 1, callee, at);
    }
}

proof fn lemma_shown_place(files: Seq<diagnostics::KnownView>, uri: Seq<char>, from: int)
    requires
        0 <= from,
    ensures
        match diagnostics::shown_place(files, uri, from) {
            Some(i) => from <= i < files.len() && files[i].uri == uri && forall|j: int|
                from <= j < i ==> (#[trigger] files[j]).uri != uri,
            None => forall|j: int| from <= j < files.len() ==> (#[trigger] files[j]).uri != uri,
        },
    decreases files.len() - from,
{
    if from < files.len() && files[from].uri != uri {
        lemma_shown_place(files, uri, from + 1);
    }
}

/// An editor knows what it was told of a file, and of the others what it knew before.
pub proof fn telling_is_remembered(
    cache: Seq<diagnostics::KnownView>,
    file: diagnostics::FileDiagnosticsView,
    path: Option<Seq<char>>,
    uri: Seq<char>,
)
    ensures
        diagnostics::known(diagnostics::told(cache, file, path), uri) == if uri == file.uri {
            Some(file.diagnostics)
        } else {
            diagnostics::known(cache, uri)
        },
{
    let after = diagnostics::told(cache, file, path);
    lemma_shown_place(cache, file.uri, 0);
    lemma_shown_place(cache, uri, 0);
    lemma_shown_place(after, uri, 0);
    match diagnostics::shown_place(cache, file.uri, 0) {
        Some(i) => {
            assert forall|k: int| 0 <= k < cache.len() && k != i implies #[trigger] after[k]
                == cache[k] by {}
            assert(after[i].uri == file.uri && after[i].diagnostics == file.diagnostics);
            if uri != file.uri {
                if let Some(k) = diagnostics::shown_place(cache, uri, 0) {
                    assert(after[k] == cache[k]);
                }
                if let Some(k) = diagnostics::shown_place(after, uri, 0) {
                    assert(after[k] == cache[k]);
                }
            }
        },
        None => {
            assert forall|k: int| 0 <= k < cache.len() implies #[trigger] after[k] == cache[k] by {}
            assert(after[cache.len() as int].uri == file.uri);
            if uri != file.uri {
                if let Some(k) = diagnostics::shown_place(cache, uri, 0) {
                    assert(after[k] == cache[k]);
                }
                if let Some(k) = diagnostics::shown_place(after, uri, 0) {
                    assert(k < cache.len());
                }
            }
        },
    }
}

proof fn lemma_told_all(
    findings: Seq<diagnostics::FindingView>,
    cache: Seq<diagnostics::KnownView>,
    uris: Seq<Seq<char>>,
    paths: Seq<Option<Seq<char>>>,
    n: int,
)
    requires
        0 <= n <= uris.len(),
    ensures
        forall|j: int|
            0 <= j < n ==> diagnostics::known(
                diagnostics::cache_after(findings, cache, uris, paths, n),
                #[trigger] uris[j],
            ) == Some(diagnostics::shown_in(findings, uris[j])),
    decreases n,
{
    if n > 0 {
        lemma_told_all(findings, cache, uris, paths, n - 1);
        let before = diagnostics::cache_after(findings, cache, uris, paths, n - 1);
        let file = diagnostics::FileDiagnosticsView {
            uri: uris[n - 1],
            diagnostics: diagnostics::shown_in(findings, uris[n - 1]),
        };
        assert forall|j: int| 0 <= j < n implies diagnostics::known(
            diagnostics::cache_after(findings, cache, uris, paths, n),
            #[trigger] uris[j],
        ) == Some(diagnostics::shown_in(findings, uris[j])) by {
            telling_is_remembered(before, file, diagnostics::path_at(paths, n - 1), uris[j]);
        }
    }
}

proof fn lemma_nothing_new(
    findings: Seq<diagnostics::FindingView>,
    cache: Seq<diagnostics::KnownView>,
    uris: Seq<Seq<char>>,
    paths: Seq<Option<Seq<char>>>,
    n: int,
)
    requires
        0 <= n <= uris.len(),
        forall|j: int|
            0 <= j < uris.len() ==> diagnostics::known(cache, #[trigger] uris[j]) == Some(
                diagnostics::shown_in(findings, uris[j]),
            ),
    ensures
        diagnostics::announced(findings, cache, uris, paths, n) == Seq::<
            diagnostics::FileDiagnosticsView,
        >::empty(),
        diagnostics::cache_after(findings, cache, uris, paths, n) == cache,
    decreases n,
{
    if n > 0 {
        lemma_nothing_new(findings, cache, uris, paths, n - 1);
        assert(diagnostics::known(cache, uris[n - 1]) == Some(
            diagnostics::shown_in(findings, uris[n - 1]),
        ));
    }
}

proof fn lemma_distinct_members(values: Seq<Seq<char>>, n: int)
    requires
        0 <= n <= values.len(),
    ensures
        forall|i: int| 0 <= i < n ==> text::distinct(values, n).contains(#[trigger] values[i]),
        forall|value: Seq<char>| #[trigger]
            text::distinct(values, n).contains(value) ==> values.contains(value),
    decreases n,
{
    if n > 0 {
        lemma_distinct_members(values, n - 1);
        let front = text::distinct(values, n - 1);
        let all = text::distinct(values, n);
        if !front.contains(values[n - 1]) {
            assert(all =~= front.push(values[n - 1]));
            assert(all[front.len() as int] == values[n - 1]);
        }
        assert forall|i: int| 0 <= i < n implies all.contains(#[trigger] values[i]) by {
            if i < n - 1 {
                assert(front.contains(values[i]));
                let k = choose|k: int| 0 <= k < front.len() && front[k] == values[i];
                assert(all[k] == values[i]);
            }
        }
        assert forall|value: Seq<char>| #[trigger] all.contains(value) implies values.contains(
            value,
        ) by {
            let k = choose|k: int| 0 <= k < all.len() && all[k] == value;
            if k < front.len() {
                assert(front[k] == value);
                assert(front.contains(value));
            } else {
                assert(values[n - 1] == value);
            }
        }
    }
}

proof fn lemma_files_to_tell(
    findings: Seq<diagnostics::FindingView>,
    inside: Seq<Seq<char>>,
    uri: Seq<char>,
)
    ensures
        diagnostics::files_to_tell(findings, inside).contains(uri) == (inside.contains(uri)
            || exists|i: int| 0 <= i < findings.len() && (#[trigger] findings[i]).uri == uri),
{
    let named = findings.map_values(|finding: diagnostics::FindingView| finding.uri);
    let uris = named + inside;
    let each = text::distinct(uris, uris.len() as int);
    let all = sort::sorted::<String>(each);
    sort::sorting_orders::<String>(each);
    all.to_multiset_ensures();
    each.to_multiset_ensures();
    lemma_distinct_members(uris, uris.len() as int);
    assert(all.contains(uri) == each.contains(uri)) by {
        assert(all.to_multiset().count(uri) == each.to_multiset().count(uri));
    }
    if inside.contains(uri) {
        let k = choose|k: int| 0 <= k < inside.len() && inside[k] == uri;
        assert(uris[named.len() + k] == uri);
    }
    if exists|i: int| 0 <= i < findings.len() && (#[trigger] findings[i]).uri == uri {
        let i = choose|i: int| 0 <= i < findings.len() && (#[trigger] findings[i]).uri == uri;
        assert(uris[i] == uri);
    }
    if uris.contains(uri) {
        let k = choose|k: int| 0 <= k < uris.len() && uris[k] == uri;
        if k < named.len() {
            assert(findings[k].uri == uri);
        } else {
            assert(inside[k - named.len()] == uri);
        }
    }
}

/// Whether one of the files has a URI and lies in a directory.
pub open spec fn has_inside(
    files: Seq<diagnostics::KnownView>,
    n: int,
    root: Seq<char>,
    platform: Platform,
    uri: Seq<char>,
) -> bool {
    exists|i: int|
        0 <= i < n && (#[trigger] files[i]).uri == uri && (files[i].path matches Some(path)
            && path::is_inside(path, root, platform))
}

proof fn lemma_inside(
    files: Seq<diagnostics::KnownView>,
    root: Seq<char>,
    platform: Platform,
    uri: Seq<char>,
    n: int,
)
    requires
        0 <= n <= files.len(),
    ensures
        diagnostics::inside_from(files, root, platform, n).contains(uri) == has_inside(
            files,
            n,
            root,
            platform,
            uri,
        ),
    decreases n,
{
    if n > 0 {
        lemma_inside(files, root, platform, uri, n - 1);
        let front = diagnostics::inside_from(files, root, platform, n - 1);
        let whole = diagnostics::inside_from(files, root, platform, n);
        if front.contains(uri) {
            assert(whole[front.index_of(uri)] == uri);
        }
        if whole.contains(uri) && !front.contains(uri) {
            let k = whole.index_of(uri);
            if k < front.len() {
                assert(front[k] == uri);
            }
            assert(files[n - 1].uri == uri);
        }
        if whole.len() > front.len() {
            assert(whole[front.len() as int] == files[n - 1].uri);
        }
    }
}

proof fn lemma_kept_inside(
    findings: Seq<diagnostics::FindingView>,
    cache: Seq<diagnostics::KnownView>,
    uris: Seq<Seq<char>>,
    paths: Seq<Option<Seq<char>>>,
    root: Seq<char>,
    platform: Platform,
    uri: Seq<char>,
    n: int,
)
    requires
        0 <= n <= uris.len(),
        ({
            let after = diagnostics::cache_after(findings, cache, uris, paths, n);
            has_inside(after, after.len() as int, root, platform, uri)
        }),
    ensures
        has_inside(cache, cache.len() as int, root, platform, uri) || uris.contains(uri),
    decreases n,
{
    if n > 0 {
        let before = diagnostics::cache_after(findings, cache, uris, paths, n - 1);
        let after = diagnostics::cache_after(findings, cache, uris, paths, n);
        let i = choose|i: int|
            0 <= i < after.len() && (#[trigger] after[i]).uri == uri && (after[i].path matches Some(
                path,
            ) && path::is_inside(path, root, platform));
        if uri == uris[n - 1] {
            assert(uris.contains(uri));
        } else {
            lemma_shown_place(before, uris[n - 1], 0);
            assert(before[i] == after[i]);
            lemma_kept_inside(findings, cache, uris, paths, root, platform, uri, n - 1);
        }
    }
}

/// An editor that was told of a workspace is told nothing when it is told again while neither the
/// workspace nor what the editor knows has changed, and it then knows what it knew.
pub proof fn telling_again_says_nothing(
    held: workspace::WorkspaceView,
    paths: Seq<Option<Seq<char>>>,
    paths_again: Seq<Option<Seq<char>>>,
    before: Seq<diagnostics::KnownView>,
    told: Seq<diagnostics::FileDiagnosticsView>,
    between: Seq<diagnostics::KnownView>,
    told_again: Seq<diagnostics::FileDiagnosticsView>,
    after: Seq<diagnostics::KnownView>,
)
    requires
        diagnostics::tells(held, paths, before, told, between),
        diagnostics::tells(held, paths_again, between, told_again, after),
    ensures
        told_again == Seq::<diagnostics::FileDiagnosticsView>::empty(),
        after == between,
{
    let findings = diagnostics::findings(held);
    let uris = diagnostics::news_of(held, before);
    let again = diagnostics::news_of(held, between);
    let inside = diagnostics::inside_of(before, held.root, held.platform);
    let inside_again = diagnostics::inside_of(between, held.root, held.platform);
    lemma_told_all(findings, before, uris, paths, uris.len() as int);
    assert forall|j: int| 0 <= j < again.len() implies diagnostics::known(
        between,
        #[trigger] again[j],
    ) == Some(diagnostics::shown_in(findings, again[j])) by {
        let uri = again[j];
        assert(again.contains(uri));
        lemma_files_to_tell(findings, inside, uri);
        lemma_files_to_tell(findings, inside_again, uri);
        lemma_inside(before, held.root, held.platform, uri, before.len() as int);
        lemma_inside(between, held.root, held.platform, uri, between.len() as int);
        if inside_again.contains(uri) {
            lemma_kept_inside(
                findings,
                before,
                uris,
                paths,
                held.root,
                held.platform,
                uri,
                uris.len() as int,
            );
        }
        assert(uris.contains(uri));
        let k = choose|k: int| 0 <= k < uris.len() && uris[k] == uri;
        assert(diagnostics::known(between, uris[k]) == Some(
            diagnostics::shown_in(findings, uris[k]),
        ));
    }
    lemma_nothing_new(findings, between, again, paths_again, again.len() as int);
}

/// What is told of a file is all that there is to show in it, and everything that is to be shown is
/// known afterwards.
pub proof fn everything_is_told(
    held: workspace::WorkspaceView,
    paths: Seq<Option<Seq<char>>>,
    before: Seq<diagnostics::KnownView>,
    told: Seq<diagnostics::FileDiagnosticsView>,
    after: Seq<diagnostics::KnownView>,
    i: int,
)
    requires
        diagnostics::tells(held, paths, before, told, after),
        0 <= i < diagnostics::findings(held).len(),
    ensures
        diagnostics::known(after, diagnostics::findings(held)[i].uri) == Some(
            diagnostics::shown_in(
                diagnostics::findings(held),
                diagnostics::findings(held)[i].uri,
            ),
        ),
{
    let findings = diagnostics::findings(held);
    let uris = diagnostics::news_of(held, before);
    lemma_told_all(findings, before, uris, paths, uris.len() as int);
    lemma_files_to_tell(
        findings,
        diagnostics::inside_of(before, held.root, held.platform),
        findings[i].uri,
    );
    let k = choose|k: int| 0 <= k < uris.len() && uris[k] == findings[i].uri;
    assert(diagnostics::known(after, uris[k]) == Some(diagnostics::shown_in(findings, uris[k])));
}

/// Nothing goes below a translation: where a scope around a key is one itself, the key cannot be
/// added.
pub proof fn nothing_goes_below_a_translation(
    snapshot: index::SnapshotView,
    namespace: Option<Seq<char>>,
    key: Seq<char>,
    locale: Seq<char>,
    separator: Seq<char>,
    value: Seq<char>,
    n: int,
)
    requires
        0 <= n < edit::ancestors(key, separator).len(),
        edit::has_leaf(
            snapshot.entries_of(namespace, edit::ancestors(key, separator)[n]),
            locale,
        ),
    ensures
        edit::target_for(snapshot, namespace, key, locale, separator) is None,
        edit::edit_for(snapshot, namespace, key, locale, separator, value) is None,
{
    assert(edit::is_blocked(snapshot, namespace, edit::ancestors(key, separator), locale));
}

/// An edit that adds a key takes nothing away: it leaves all that stands before and behind its
/// place, as far as a position can be written in 32 bits.
pub proof fn adding_keeps_the_text(
    snapshot: index::SnapshotView,
    namespace: Option<Seq<char>>,
    key: Seq<char>,
    locale: Seq<char>,
    separator: Seq<char>,
    value: Seq<char>,
    file: index::FileView,
)
    requires
        edit::edit_for(snapshot, namespace, key, locale, separator, value) matches Some(edit)
            && snapshot.file(edit.uri) == Some(file),
        text::byte_len(file.text) <= u32::MAX,
    ensures
        ({
            let edit = edit::edit_for(snapshot, namespace, key, locale, separator, value)->0;
            exists|i: int|
                0 <= i <= file.text.len() && edit::changed(
                    file.text,
                    edit::ChangeView { range: Some(edit.range), text: edit.new_text },
                ) == #[trigger] file.text.take(i) + edit.new_text + file.text.skip(i)
        }),
{
    let edit = edit::edit_for(snapshot, namespace, key, locale, separator, value)->0;
    let target = edit::target_for(snapshot, namespace, key, locale, separator)->0;
    let (start, end) = edit::object_range(file.text, target.ancestor)->0;
    let insert = edit::insertion(
        file.text,
        start,
        end,
        edit::literals_of(edit::segments_below(key, target.ancestor, separator)),
        json::string_literal(value),
    )->0;
    let at = insert.offset;
    text::lemma_index_at(file.text, at);
    position::position_and_back(file.text, at);
    let i = text::index_at(file.text, at)->0;
    assert(file.text.take(i) + edit.new_text + file.text.skip(i) == edit::changed(
        file.text,
        edit::ChangeView { range: Some(edit.range), text: edit.new_text },
    ));
}

/// A key that is written with its namespace is read as that key in that namespace, where the
/// namespace holds something and no colon.
pub proof fn qualified_text_and_back(
    namespace: Seq<char>,
    key: Seq<char>,
    separator: Seq<char>,
)
    requires
        namespace.len() > 0,
        !namespace.contains(':'),
        key::is_key(key, separator),
    ensures
        key::namespace_and_key(
            key::qualified_text(key::QualifiedKeyView { namespace: Some(namespace), key }),
            separator,
        ) == Some((namespace, key)),
{
    reveal_strlit(":");
    let colon = seq![':'];
    assert(":"@ =~= colon);
    let text = namespace + ":"@ + key;
    let m = namespace.len() as int;
    assert(text.subrange(m, m + 1) =~= colon);
    assert(search::occurs_at(text, colon, m));
    search::lemma_find(text, colon, 0);
    let i = search::find_from(text, colon, 0)->0;
    if i < m {
        assert(text.subrange(i, i + 1)[0] == colon[0]);
        assert(namespace[i] == ':');
        assert(namespace.contains(':'));
    }
    assert(text.take(m) =~= namespace);
    assert(text.skip(m + 1) =~= key);
}

proof fn lemma_below_through(
    key: Seq<char>,
    between: Seq<char>,
    scope: Seq<char>,
    separator: Seq<char>,
)
    requires
        key::is_below(key, between, separator),
        key::is_below(between, scope, separator),
    ensures
        key::is_below(key, scope, separator),
{
    let outer = scope + separator;
    let inner = between + separator;
    let m = outer.len() as int;
    assert(key.subrange(0, 0 + m) =~= key.subrange(0, 0 + inner.len() as int).subrange(0, m));
    assert(inner.subrange(0, m) =~= between.subrange(0, 0 + m));
}

/// A key lies below each of the scopes around it, and each of these is a key.
pub proof fn ancestors_lie_above(key: Seq<char>, separator: Seq<char>, n: int)
    requires
        0 <= n < edit::ancestors(key, separator).len(),
    ensures
        key::is_below(key, edit::ancestors(key, separator)[n], separator),
        key::is_key(edit::ancestors(key, separator)[n], separator),
    decreases key.len(),
{
    key::parent_is_shorter(key, separator);
    let parent = key::parent_of(key, separator)->0;
    parent_is_next(key, separator);
    below_is_relative(key, parent, separator);
    let all = edit::ancestors(key, separator);
    let rest = edit::ancestors(parent, separator);
    assert(all =~= seq![parent] + rest);
    if n > 0 {
        ancestors_lie_above(parent, separator, n - 1);
        assert(all[n] == rest[n - 1]);
        lemma_below_through(key, parent, rest[n - 1], separator);
    }
}

/// Whether an entry is a translation with a text or an object without one, and its key is one.
pub open spec fn is_sound(entry: dictionary::EntryView, file: dictionary::DictionaryView) -> bool {
    &&& (entry.kind == EntryKind::Leaf) == (entry.value is Some)
    &&& key::is_key(entry.key, file.separator)
    &&& entry.uri == file.uri
    &&& entry.locale == file.locale
}

proof fn lemma_entries_in(file: dictionary::DictionaryView, i: int, path: Seq<Seq<char>>)
    ensures
        forall|n: int|
            0 <= n < file.entries_in(i, path).len() ==> is_sound(
                #[trigger] file.entries_in(i, path)[n],
                file,
            ),
    decreases 2 * (file.tree.len() - i),
{
    if i < file.tree.len() && file.tree[i].kind == "object"@ {
        lemma_entries_inside(file, i, i + 1, path);
        let inside = file.entries_inside(i, i + 1, path);
        assert(file.entries_in(i, path) == inside);
        assert forall|n: int| 0 <= n < file.entries_in(i, path).len() implies is_sound(
            #[trigger] file.entries_in(i, path)[n],
            file,
        ) by {
            assert(is_sound(inside[n], file));
        }
    }
}

proof fn lemma_entries_inside(
    file: dictionary::DictionaryView,
    p: int,
    j: int,
    path: Seq<Seq<char>>,
)
    ensures
        forall|n: int|
            0 <= n < file.entries_inside(p, j, path).len() ==> is_sound(
                #[trigger] file.entries_inside(p, j, path)[n],
                file,
            ),
    decreases 2 * (file.tree.len() - j) + 1,
{
    reveal_strlit("object");
    reveal_strlit("string");
    if !syntax::closed_at(file.tree, p, j) {
        lemma_entries_inside(file, p, j + 1, path);
        let rest = file.entries_inside(p, j + 1, path);
        let all = file.entries_inside(p, j, path);
        if syntax::child_at(file.tree, p, j) && file.tree[j].named {
            if let Some((name, segment, value)) = file.pair(j) {
                syntax::lemma_field_from(file.tree, j, "value"@, j + 1);
                let below = path.push(segment);
                if j < value {
                    lemma_entries_in(file, value, below);
                    let own = syntax::listed(file.entry(name, value, below));
                    let inner = file.entries_in(value, below);
                    assert(all =~= own + inner + rest);
                    assert("object"@.len() == "string"@.len());
                    assert("object"@[0] != "string"@[0]);
                    assert forall|n: int| 0 <= n < all.len() implies is_sound(
                        #[trigger] all[n],
                        file,
                    ) by {
                        if n < own.len() {
                            assert(all[n] == own[n]);
                        } else if n < own.len() + inner.len() {
                            assert(all[n] == inner[n - own.len()]);
                        } else {
                            assert(all[n] == rest[n - own.len() - inner.len()]);
                        }
                    }
                }
            }
        }
    }
}

/// Of a dictionary only strings are translations: every entry is a translation with its text or an
/// object without one.
pub proof fn only_strings_are_translations(
    uri: Seq<char>,
    locale: Seq<char>,
    text: Seq<char>,
    separator: Seq<char>,
    tree: Option<Seq<syntax::NodeView>>,
    n: int,
)
    requires
        0 <= n < dictionary::entries_of(uri, locale, text, separator, tree).len(),
    ensures
        ({
            let entry = dictionary::entries_of(uri, locale, text, separator, tree)[n];
            &&& (entry.kind == EntryKind::Leaf) == (entry.value is Some)
            &&& key::is_key(entry.key, separator)
            &&& entry.uri == uri
            &&& entry.locale == locale
        }),
{
    let file = dictionary::DictionaryView {
        uri,
        locale,
        separator,
        tree: tree->0,
        strings: syntax::strings_of(tree->0, text),
    };
    let top = syntax::named_children(file.tree, 0);
    let start = if top.len() > 0 {
        top[0]
    } else {
        0
    };
    lemma_entries_in(file, start, Seq::empty());
    assert(is_sound(file.entries_in(start, Seq::empty())[n], file));
}

/// The declarations of a key come behind its references, which are the same with and without them.
pub proof fn declarations_come_behind(
    held: workspace::WorkspaceView,
    uri: Seq<char>,
    position: position::Position,
)
    ensures
        match (
            navigation::references_at(held, uri, position, false),
            navigation::references_at(held, uri, position, true),
        ) {
            (Some(few), Some(many)) => few.is_prefix_of(many),
            (None, None) => true,
            _ => false,
        },
{
    if let (Some(few), Some(many)) = (
        navigation::references_at(held, uri, position, false),
        navigation::references_at(held, uri, position, true),
    ) {
        assert(few =~= many.take(few.len() as int));
    }
}

/// Whether a candidate stands for the key of an entry, and is what has to be written for it.
pub open spec fn stands_for(
    candidate: completion::CandidateView,
    entry: dictionary::EntryView,
    context: completion::ContextView,
    separator: Seq<char>,
) -> bool {
    &&& candidate.canonical_key == entry.key
    &&& match context.scope {
        Some(scope) => key::relative_key(entry.key, scope, separator) == Some(candidate.key),
        None => candidate.key == entry.key,
    }
}

proof fn lemma_candidates(
    entries: Seq<dictionary::EntryView>,
    i: int,
    context: completion::ContextView,
    locale: Seq<char>,
    separator: Seq<char>,
)
    requires
        0 <= i,
    ensures
        forall|n: int|
            0 <= n < completion::candidates_from(entries, i, context, locale, separator).len()
                ==> exists|k: int|
                0 <= k < entries.len() && stands_for(
                    #[trigger] completion::candidates_from(
                        entries,
                        i,
                        context,
                        locale,
                        separator,
                    )[n],
                    #[trigger] entries[k],
                    context,
                    separator,
                ),
    decreases entries.len() - i,
{
    if i < entries.len() {
        completion::lemma_group_end(entries, i, i + 1);
        let j = completion::group_end(entries, i, i + 1);
        lemma_candidates(entries, j, context, locale, separator);
        let all = completion::candidates_from(entries, i, context, locale, separator);
        let rest = completion::candidates_from(entries, j, context, locale, separator);
        let own = completion::candidate(entries, i, j, context, locale, separator);
        assert forall|n: int| 0 <= n < all.len() implies exists|k: int|
            0 <= k < entries.len() && stands_for(
                #[trigger] all[n],
                #[trigger] entries[k],
                context,
                separator,
            ) by {
            match own {
                Some(found) => {
                    if n == 0 {
                        assert(stands_for(all[0], entries[i], context, separator));
                    } else {
                        assert(all[n] == rest[n - 1]);
                    }
                },
                None => {
                    assert(all[n] == rest[n]);
                },
            }
        }
    }
}

/// Every completion stands for a key that is in the dictionaries.
pub proof fn completions_stand_for_keys(
    snapshot: index::SnapshotView,
    context: completion::ContextView,
    locale: Seq<char>,
    separator: Seq<char>,
    n: int,
)
    requires
        0 <= n < completion::ranked_candidates(snapshot, context, locale, separator).len(),
    ensures
        exists|k: int|
            0 <= k < snapshot.entries().len() && stands_for(
                completion::ranked_candidates(snapshot, context, locale, separator)[n],
                #[trigger] snapshot.entries()[k],
                context,
                separator,
            ),
{
    let entries = snapshot.entries();
    let found = completion::candidates_from(entries, 0, context, locale, separator);
    let ranked = completion::ranked_candidates(snapshot, context, locale, separator);
    lemma_candidates(entries, 0, context, locale, separator);
    sort::sorting_orders::<completion::CompletionCandidate>(found);
    found.to_multiset_ensures();
    ranked.to_multiset_ensures();
    assert(ranked.contains(ranked[n]));
    assert(found.to_multiset().count(ranked[n]) > 0);
    let m = choose|m: int| 0 <= m < found.len() && found[m] == ranked[n];
    let k = choose|k: int|
        0 <= k < entries.len() && stands_for(found[m], #[trigger] entries[k], context, separator);
    assert(stands_for(ranked[n], entries[k], context, separator));
}

proof fn lemma_scored(
    query: Seq<char>,
    haystacks: Seq<Seq<char>>,
    insert: Seq<char>,
    n: int,
)
    requires
        0 < n <= haystacks.len(),
        search::find_from(haystacks[0], query, 0) is Some,
    ensures
        completion::best_score(query, haystacks, insert, n) is Some,
    decreases n,
{
    if n > 1 {
        lemma_scored(query, haystacks, insert, n - 1);
    } else {
        assert(completion::score(query, haystacks[0], insert) is Some);
    }
}

proof fn lemma_group_key(entries: Seq<dictionary::EntryView>, i: int, j: int)
    requires
        0 <= i < j <= entries.len(),
    ensures
        forall|k: int|
            j <= k < completion::group_end(entries, i, j) ==> (#[trigger] entries[k]).key
                == entries[i].key,
    decreases entries.len() - j,
{
    if j < entries.len() && entries[j].key == entries[i].key {
        lemma_group_key(entries, i, j + 1);
    }
}

proof fn lemma_candidate_found(
    entries: Seq<dictionary::EntryView>,
    i: int,
    k: int,
    context: completion::ContextView,
    locale: Seq<char>,
    separator: Seq<char>,
)
    requires
        0 <= i <= k < entries.len(),
        is_asked_for(entries, k, context, separator),
    ensures
        exists|n: int|
            0 <= n < completion::candidates_from(entries, i, context, locale, separator).len()
                && stands_for(
                #[trigger] completion::candidates_from(
                    entries,
                    i,
                    context,
                    locale,
                    separator,
                )[n],
                entries[k],
                context,
                separator,
            ),
    decreases k - i,
{
    completion::lemma_group_end(entries, i, i + 1);
    lemma_group_key(entries, i, i + 1);
    let j = completion::group_end(entries, i, i + 1);
    let all = completion::candidates_from(entries, i, context, locale, separator);
    let rest = completion::candidates_from(entries, j, context, locale, separator);
    if k < j {
        let key = entries[i].key;
        assert(entries[k].key == key);
        let insert = match context.scope {
            Some(scope) => key::relative_key(key, scope, separator)->Some_0,
            None => key,
        };
        let found = completion::haystacks(entries, i, j, insert, false, separator);
        assert(found[0] == text::lowercase(key));
        lemma_scored(
            text::lowercase(context.query),
            found,
            text::lowercase(insert),
            found.len() as int,
        );
        assert(completion::candidate(entries, i, j, context, locale, separator) is Some);
        assert(stands_for(all[0], entries[k], context, separator));
    } else {
        lemma_candidate_found(entries, j, k, context, locale, separator);
        let n = choose|n: int|
            0 <= n < rest.len() && stands_for(
                #[trigger] rest[n],
                entries[k],
                context,
                separator,
            );
        let m = n + (all.len() - rest.len());
        assert(all[m] == rest[n]);
    }
}

/// Whether a context asks for the key of an entry: the key is that of a translation in every
/// dictionary that has it, it lies below the scope, and what has been written is part of it, both
/// in lower case.
pub open spec fn is_asked_for(
    entries: Seq<dictionary::EntryView>,
    k: int,
    context: completion::ContextView,
    separator: Seq<char>,
) -> bool {
    let key = entries[k].key;
    &&& !context.objects
    &&& forall|i: int|
        0 <= i < entries.len() && (#[trigger] entries[i]).key == key ==> entries[i].kind
            == EntryKind::Leaf
    &&& context.scope matches Some(scope) ==> key::relative_key(key, scope, separator) is Some
    &&& search::find_from(text::lowercase(key), text::lowercase(context.query), 0) is Some
}

/// A translation is among the candidates, before the list is cut, where a part of its key has been
/// written.
pub proof fn fragments_find_keys(
    snapshot: index::SnapshotView,
    context: completion::ContextView,
    locale: Seq<char>,
    separator: Seq<char>,
    k: int,
)
    requires
        0 <= k < snapshot.entries().len(),
        is_asked_for(snapshot.entries(), k, context, separator),
    ensures
        exists|n: int|
            0 <= n < completion::ranked_candidates(snapshot, context, locale, separator).len()
                && stands_for(
                #[trigger] completion::ranked_candidates(snapshot, context, locale, separator)[n],
                snapshot.entries()[k],
                context,
                separator,
            ),
{
    let entries = snapshot.entries();
    let found = completion::candidates_from(entries, 0, context, locale, separator);
    let ranked = completion::ranked_candidates(snapshot, context, locale, separator);
    lemma_candidate_found(entries, 0, k, context, locale, separator);
    let m = choose|m: int|
        0 <= m < found.len() && stands_for(#[trigger] found[m], entries[k], context, separator);
    lemma_sorted_contains::<completion::CompletionCandidate>(found, found[m]);
    assert(stands_for(ranked[ranked.index_of(found[m])], entries[k], context, separator));
}

/// Whether two lists of entries differ in their translations, files and places only.
pub open spec fn same_keys(
    first: Seq<dictionary::EntryView>,
    second: Seq<dictionary::EntryView>,
) -> bool {
    &&& first.len() == second.len()
    &&& forall|i: int|
        0 <= i < first.len() ==> (#[trigger] first[i]).key == second[i].key && first[i].kind
            == second[i].kind
}

proof fn lemma_group_alike(
    first: Seq<dictionary::EntryView>,
    second: Seq<dictionary::EntryView>,
    i: int,
    j: int,
)
    requires
        same_keys(first, second),
        0 <= i < first.len(),
        0 <= j,
    ensures
        completion::group_end(first, i, j) == completion::group_end(second, i, j),
    decreases first.len() - j,
{
    if j < first.len() && first[j].key == first[i].key {
        lemma_group_alike(first, second, i, j + 1);
    }
}

proof fn lemma_kind_alike(
    first: Seq<dictionary::EntryView>,
    second: Seq<dictionary::EntryView>,
    i: int,
    j: int,
    kind: EntryKind,
)
    requires
        same_keys(first, second),
        0 <= i,
        j <= first.len(),
    ensures
        completion::has_kind(first, i, j, kind) ==> completion::has_kind(second, i, j, kind),
{
    if completion::has_kind(first, i, j, kind) {
        let k = choose|k: int| i <= k < j && (#[trigger] first[k]).kind == kind;
        assert(second[k].kind == kind);
    }
}

proof fn lemma_below_alike(
    first: Seq<dictionary::EntryView>,
    second: Seq<dictionary::EntryView>,
    scope: Seq<char>,
    separator: Seq<char>,
    j: int,
)
    requires
        same_keys(first, second),
    ensures
        completion::keys_below(first, scope, separator, j) == completion::keys_below(
            second,
            scope,
            separator,
            j,
        ),
    decreases first.len() - j,
{
    if 0 <= j < first.len() && key::is_below(first[j].key, scope, separator) {
        lemma_below_alike(first, second, scope, separator, j + 1);
    }
}

/// Keys are searched, and not their translations: which keys are found, and how well they match,
/// does not depend on these.
pub proof fn translations_are_not_searched(
    first: Seq<dictionary::EntryView>,
    second: Seq<dictionary::EntryView>,
    i: int,
    context: completion::ContextView,
    locale: Seq<char>,
    separator: Seq<char>,
)
    requires
        same_keys(first, second),
        0 <= i,
    ensures
        ({
            let found = completion::candidates_from(first, i, context, locale, separator);
            let other = completion::candidates_from(second, i, context, locale, separator);
            &&& found.len() == other.len()
            &&& forall|n: int|
                0 <= n < found.len() ==> (#[trigger] found[n]).key == other[n].key
                    && found[n].canonical_key == other[n].canonical_key && found[n].score
                    == other[n].score
        }),
    decreases first.len() - i,
{
    if i < first.len() {
        completion::lemma_group_end(first, i, i + 1);
        lemma_group_alike(first, second, i, i + 1);
        let j = completion::group_end(first, i, i + 1);
        lemma_below_alike(first, second, first[i].key, separator, j);
        translations_are_not_searched(first, second, j, context, locale, separator);
        lemma_kind_alike(first, second, i, j, EntryKind::Object);
        lemma_kind_alike(second, first, i, j, EntryKind::Object);
        lemma_kind_alike(first, second, i, j, EntryKind::Leaf);
        lemma_kind_alike(second, first, i, j, EntryKind::Leaf);
        let found = completion::candidates_from(first, i, context, locale, separator);
        let other = completion::candidates_from(second, i, context, locale, separator);
        let rest = completion::candidates_from(first, j, context, locale, separator);
        let rest_other = completion::candidates_from(second, j, context, locale, separator);
        let own = completion::candidate(first, i, j, context, locale, separator);
        assert(own is Some == completion::candidate(
            second,
            i,
            j,
            context,
            locale,
            separator,
        ) is Some);
        assert forall|n: int| 0 <= n < found.len() implies (#[trigger] found[n]).key == other[n].key
            && found[n].canonical_key == other[n].canonical_key && found[n].score
            == other[n].score by {
            match own {
                Some(_) => {
                    if n > 0 {
                        assert(found[n] == rest[n - 1]);
                        assert(other[n] == rest_other[n - 1]);
                    }
                },
                None => {
                    assert(found[n] == rest[n]);
                    assert(other[n] == rest_other[n]);
                },
            }
        }
    }
}

/// Changes that come in two parts come to the same as all of them at once.
pub proof fn changes_add_up(
    text: Seq<char>,
    first: Seq<edit::ChangeView>,
    second: Seq<edit::ChangeView>,
    n: int,
)
    requires
        0 <= n <= second.len(),
    ensures
        edit::changed_by(text, first + second, first.len() + n) == edit::changed_by(
            edit::changed_by(text, first, first.len() as int),
            second,
            n,
        ),
    decreases n,
{
    if n > 0 {
        changes_add_up(text, first, second, n - 1);
        assert((first + second)[first.len() + n - 1] == second[n - 1]);
    } else {
        lemma_front_changes(text, first, second, first.len() as int);
    }
}

proof fn lemma_front_changes(
    text: Seq<char>,
    first: Seq<edit::ChangeView>,
    second: Seq<edit::ChangeView>,
    n: int,
)
    requires
        0 <= n <= first.len(),
    ensures
        edit::changed_by(text, first + second, n) == edit::changed_by(text, first, n),
    decreases n,
{
    if n > 0 {
        lemma_front_changes(text, first, second, n - 1);
    }
}

/// No more keys are unused than there are.
pub proof fn counts_fit(
    held: workspace::WorkspaceView,
    entries: Seq<dictionary::EntryView>,
    n: int,
)
    requires
        0 <= n <= entries.len(),
    ensures
        0 <= status::unused_count(held, entries, n) <= status::key_count(entries, n) <= n,
    decreases n,
{
    if n > 0 {
        counts_fit(held, entries, n - 1);
    }
}

proof fn lemma_kept_contains<V>(items: Seq<V>, keep: spec_fn(V) -> bool, item: V)
    requires
        items.contains(item),
        keep(item),
    ensures
        sort::kept(items, keep).contains(item),
    decreases items.len(),
{
    let i = items.index_of(item);
    let front = sort::kept(items.drop_last(), keep);
    if i == items.len() - 1 {
        assert(sort::kept(items, keep) == front.push(item));
        assert(front.push(item)[front.len() as int] == item);
    } else {
        assert(items.drop_last()[i] == item);
        lemma_kept_contains(items.drop_last(), keep, item);
        let k = front.index_of(item);
        assert(sort::kept(items, keep)[k] == item);
    }
}

proof fn lemma_sorted_contains<T: sort::Ranked>(items: Seq<T::V>, item: T::V)
    requires
        items.contains(item),
    ensures
        sort::sorted::<T>(items).contains(item),
{
    broadcast use vstd::seq_lib::group_to_multiset_ensures;

    sort::sorting_orders::<T>(items);
    assert(items.to_multiset().contains(item));
    assert(sort::sorted::<T>(items).to_multiset().contains(item));
}

proof fn lemma_occurrences_within(files: Seq<index::FileView>, f: int, o: int, n: int)
    requires
        0 <= f < n <= files.len(),
        0 <= o < files[f].occurrences.len(),
    ensures
        index::occurrences_within(files, n).contains(files[f].occurrences[o]),
    decreases n,
{
    let front = index::occurrences_within(files, n - 1);
    if f == n - 1 {
        assert((front + files[f].occurrences)[front.len() + o] == files[f].occurrences[o]);
    } else {
        lemma_occurrences_within(files, f, o, n - 1);
        let k = front.index_of(files[f].occurrences[o]);
        assert((front + files[n - 1].occurrences)[k] == files[f].occurrences[o]);
    }
}

proof fn lemma_entries_within(files: Seq<index::FileView>, f: int, e: int, n: int)
    requires
        0 <= f < n <= files.len(),
        0 <= e < files[f].dictionaries.len(),
    ensures
        index::entries_within(files, n).contains(files[f].dictionaries[e]),
    decreases n,
{
    let front = index::entries_within(files, n - 1);
    if f == n - 1 {
        assert((front + files[f].dictionaries)[front.len() + e] == files[f].dictionaries[e]);
    } else {
        lemma_entries_within(files, f, e, n - 1);
        let k = front.index_of(files[f].dictionaries[e]);
        assert((front + files[n - 1].dictionaries)[k] == files[f].dictionaries[e]);
    }
}

proof fn lemma_occurrence_place(
    snapshot: index::SnapshotView,
    occurrences: Seq<source::OccurrenceView>,
    i: int,
    n: int,
)
    requires
        0 <= i < n <= occurrences.len(),
    ensures
        position::location_of(snapshot, occurrences[i].uri, occurrences[i].range) matches Some(
            place,
        ) ==> navigation::occurrence_places(snapshot, occurrences, n).contains(place),
    decreases n,
{
    if let Some(place) = position::location_of(
        snapshot,
        occurrences[i].uri,
        occurrences[i].range,
    ) {
        let front = navigation::occurrence_places(snapshot, occurrences, n - 1);
        let places = navigation::occurrence_places(snapshot, occurrences, n);
        if i == n - 1 {
            assert(places[front.len() as int] == place);
        } else {
            lemma_occurrence_place(snapshot, occurrences, i, n - 1);
            assert(places[front.index_of(place)] == place);
        }
    }
}

proof fn lemma_entry_place(
    snapshot: index::SnapshotView,
    entries: Seq<dictionary::EntryView>,
    i: int,
    n: int,
)
    requires
        0 <= i < n <= entries.len(),
    ensures
        position::location_of(snapshot, entries[i].uri, entries[i].key_range) matches Some(place)
            ==> navigation::entry_places(snapshot, entries, n).contains(place),
    decreases n,
{
    if let Some(place) = position::location_of(snapshot, entries[i].uri, entries[i].key_range) {
        let front = navigation::entry_places(snapshot, entries, n - 1);
        let places = navigation::entry_places(snapshot, entries, n);
        if i == n - 1 {
            assert(places[front.len() as int] == place);
        } else {
            lemma_entry_place(snapshot, entries, i, n - 1);
            assert(places[front.index_of(place)] == place);
        }
    }
}

/// Whether a key is the one at a position in a file.
pub open spec fn key_stands_at(
    held: workspace::WorkspaceView,
    uri: Seq<char>,
    position: position::Position,
    namespace: Option<Seq<char>>,
    key: Seq<char>,
) -> bool {
    navigation::key_at(held.snapshot, uri, position, held.config.key_separator) == Some(
        key::QualifiedKeyView { namespace, key },
    )
}

/// The occurrence at a position in a file.
pub open spec fn occurrence_at(
    held: workspace::WorkspaceView,
    uri: Seq<char>,
    position: position::Position,
) -> Option<source::OccurrenceView> {
    match position::offset_in(held.snapshot, uri, position) {
        Some(offset) => navigation::occurrence_under(held.snapshot, uri, offset as usize),
        None => None,
    }
}

/// Whatever file names a translation: the references of that translation lead there, from a use of
/// it as from a dictionary, and so does its definition from a dictionary.
pub proof fn uses_are_found(
    held: workspace::WorkspaceView,
    uri: Seq<char>,
    position: position::Position,
    include_declaration: bool,
    f: int,
    o: int,
    place: position::LocationView,
)
    requires
        0 <= f < held.snapshot.files.len(),
        0 <= o < held.snapshot.files[f].occurrences.len(),
        ({
            let used = held.snapshot.files[f].occurrences[o];
            &&& key_stands_at(held, uri, position, used.namespace, used.key)
            &&& !navigation::has_object(held.snapshot.entries_of(used.namespace, used.key))
            &&& position::location_of(held.snapshot, used.uri, used.range) == Some(place)
        }),
        occurrence_at(held, uri, position) matches Some(here) ==> here.kind
            != OccurrenceKind::ScopeDeclaration,
    ensures
        navigation::references_at(held, uri, position, include_declaration) matches Some(places)
            && places.contains(place),
        occurrence_at(held, uri, position) is None ==> (navigation::definition_at(
            held,
            uri,
            position,
        ) matches Some(places) && places.contains(place)),
{
    let snapshot = held.snapshot;
    let used = snapshot.files[f].occurrences[o];
    let separator = held.config.key_separator;
    let key = key::QualifiedKeyView { namespace: used.namespace, key: used.key };
    let all = index::occurrences_within(snapshot.files, snapshot.files.len() as int);
    lemma_occurrences_within(snapshot.files, f, o, snapshot.files.len() as int);
    lemma_sorted_contains::<source::SourceOccurrence>(all, used);
    lemma_kept_contains(
        snapshot.occurrences(),
        |occurrence: source::OccurrenceView| occurrence.namespace == used.namespace,
        used,
    );
    lemma_kept_contains(
        snapshot.occurrences_in(used.namespace),
        lookup::of_key::<source::SourceOccurrence>(used.key),
        used,
    );
    let named = snapshot.occurrences_of(used.namespace, used.key);
    let i = named.index_of(used);
    let found = navigation::uses_of(snapshot, key, separator, false);
    assert(found[i] == used);
    lemma_occurrence_place(snapshot, found, i, found.len() as int);
    let places = navigation::occurrence_places(snapshot, found, found.len() as int);
    let entries = snapshot.entries_of(used.namespace, used.key);
    let rest = navigation::entry_places(snapshot, entries, entries.len() as int);
    assert((places + rest)[places.index_of(place)] == place);
}

/// Whatever dictionary holds a key in the default locale: the definition of the key leads there
/// from source code that uses it.
pub proof fn translations_are_found(
    held: workspace::WorkspaceView,
    uri: Seq<char>,
    position: position::Position,
    f: int,
    e: int,
    place: position::LocationView,
)
    requires
        0 <= f < held.snapshot.files.len(),
        0 <= e < held.snapshot.files[f].dictionaries.len(),
        ({
            let entry = held.snapshot.files[f].dictionaries[e];
            &&& key_stands_at(held, uri, position, entry.namespace, entry.key)
            &&& entry.locale == held.config.default_locale
            &&& position::location_of(held.snapshot, entry.uri, entry.key_range) == Some(place)
        }),
        occurrence_at(held, uri, position) matches Some(here) && here.kind
            != OccurrenceKind::NamespaceDeclaration,
        held.snapshot.file(uri) matches Some(file) ==> file.dictionaries.len() == 0,
    ensures
        navigation::definition_at(held, uri, position) matches Some(places) && places.contains(
            place,
        ),
{
    let snapshot = held.snapshot;
    let entry = snapshot.files[f].dictionaries[e];
    let all = index::entries_within(snapshot.files, snapshot.files.len() as int);
    lemma_entries_within(snapshot.files, f, e, snapshot.files.len() as int);
    lemma_sorted_contains::<dictionary::DictionaryEntry>(all, entry);
    lemma_kept_contains(
        snapshot.entries(),
        |other: dictionary::EntryView| other.namespace == entry.namespace,
        entry,
    );
    lemma_kept_contains(
        snapshot.entries_in(entry.namespace),
        lookup::of_key::<dictionary::DictionaryEntry>(entry.key),
        entry,
    );
    let named = snapshot.entries_of(entry.namespace, entry.key);
    lemma_kept_contains(
        named,
        |other: dictionary::EntryView| other.locale == held.config.default_locale,
        entry,
    );
    let found = navigation::in_locale(named, held.config.default_locale);
    lemma_entry_place(snapshot, found, found.index_of(entry), found.len() as int);
}

} // verus!
